//! Bounded integer quadratic programming: the integer part of an instance.
//!
//! An instance minimises `sum_i (c_i y_i^2 + d_i y_i)` over integers
//! `y_i` in `{-K, ..., K}` subject to linear constraints. Variable `i` is
//! encoded by a configuration entry `config[i]` in `{0, ..., 2K}` with
//! `y_i = config[i] - K`. The objective's coefficients are floating-point
//! numbers and are held by the caller; this module decodes configurations
//! and decides feasibility.
use vstd::prelude::*;
use crate::types::EvaluationError;
use crate::models::algebraic::ilp::{
    constraints_result, lemma_constraints_result_stays, satisfied_result, LinearConstraint,
};

verus! {

/// The variables, their bound `K` and the linear constraints of a bounded
/// integer quadratic program.
#[derive(Debug, Clone)]
pub struct QuadraticProgramming {
    num_vars: usize,
    bound: usize,
    constraints: Vec<LinearConstraint>,
}

/// The values that a configuration encodes: entry `i` minus the bound.
pub open spec fn decoded_values(config: Seq<usize>, bound: usize) -> Seq<int> {
    Seq::new(config.len(), |i: int| config[i] as int - bound as int)
}

impl QuadraticProgramming {
    /// Number of variables.
    pub closed spec fn spec_num_vars(&self) -> usize {
        self.num_vars
    }

    /// The bound `K` of every variable.
    pub closed spec fn spec_bound(&self) -> usize {
        self.bound
    }

    /// The linear constraints.
    pub closed spec fn spec_constraints(&self) -> Seq<LinearConstraint> {
        self.constraints@
    }

    /// An instance with `num_vars` variables in `{-bound, ..., bound}`;
    /// panics when `bound` is 0.
    pub fn new(num_vars: usize, bound: usize, constraints: Vec<LinearConstraint>) -> (r: Self)
        requires
            bound >= 1,
        ensures
            r.spec_num_vars() == num_vars,
            r.spec_bound() == bound,
            r.spec_constraints() == constraints@,
    {
        QuadraticProgramming { num_vars, bound, constraints }
    }

    /// Number of variables.
    pub fn num_vars(&self) -> (r: usize)
        ensures
            r == self.spec_num_vars(),
    {
        self.num_vars
    }

    /// The bound `K` of every variable.
    pub fn bound(&self) -> (r: usize)
        ensures
            r == self.spec_bound(),
    {
        self.bound
    }

    /// Number of linear constraints.
    pub fn num_constraints(&self) -> (r: usize)
        ensures
            r == self.spec_constraints().len(),
    {
        self.constraints.len()
    }

    /// The domain size `2K + 1` of each variable, once per variable.
    pub fn dims(&self) -> (r: Vec<usize>)
        requires
            2 * self.spec_bound() + 1 <= usize::MAX,
        ensures
            r@ == Seq::new(self.spec_num_vars() as nat, |i: int| (2 * self.spec_bound() + 1) as usize),
    {
        let d = 2 * self.bound + 1;
        let mut r: Vec<usize> = Vec::new();
        let mut i: usize = 0;
        while i < self.num_vars
            invariant
                i <= self.num_vars,
                d == 2 * self.bound + 1,
                r@ == Seq::new(i as nat, |j: int| d),
            decreases self.num_vars - i,
        {
            r.push(d);
            i += 1;
            assert(r@ =~= Seq::new(i as nat, |j: int| d));
        }
        r
    }

    /// The values `config[i] - K` that a configuration encodes.
    pub fn config_to_values(&self, config: &[usize]) -> (r: Vec<i64>)
        requires
            self.spec_bound() <= i64::MAX,
            forall|i: int| 0 <= i < config@.len() ==> #[trigger] config@[i] <= i64::MAX,
        ensures
            r@.len() == config@.len(),
            forall|i: int| 0 <= i < config@.len() ==> #[trigger] r@[i] as int == decoded_values(config@, self.spec_bound())[i],
    {
        let k: i64 = self.bound as i64;
        let mut r: Vec<i64> = Vec::new();
        let mut i: usize = 0;
        while i < config.len()
            invariant
                i <= config@.len(),
                k as int == self.spec_bound(),
                0 <= k,
                forall|j: int| 0 <= j < config@.len() ==> #[trigger] config@[j] <= i64::MAX,
                r@.len() == i,
                forall|j: int| 0 <= j < i ==> #[trigger] r@[j] as int == config@[j] as int - k,
            decreases config.len() - i,
        {
            assert(config@[i as int] <= i64::MAX);
            r.push(config[i] as i64 - k);
            i += 1;
        }
        r
    }

    /// Whether every constraint holds under the values, checked in order:
    /// the first error or the first violated constraint decides.
    pub fn constraints_satisfied(&self, values: &[i64]) -> (r: Result<bool, EvaluationError>)
        ensures
            r == constraints_result(self.spec_constraints(), values@, self.spec_constraints().len() as int),
    {
        let cs = &self.constraints;
        let mut k: usize = 0;
        while k < cs.len()
            invariant
                k <= cs@.len(),
                cs@ == self.spec_constraints(),
                constraints_result(cs@, values@, k as int) == Ok::<bool, EvaluationError>(true),
            decreases cs.len() - k,
        {
            let res = cs[k].is_satisfied(values);
            assert(res == satisfied_result(cs@[k as int], values@));
            match res {
                Ok(b) => {
                    if !b {
                        proof { lemma_constraints_result_stays(cs@, values@, k as int + 1, cs@.len() as int); }
                        return Ok(false);
                    }
                },
                Err(e) => {
                    proof { lemma_constraints_result_stays(cs@, values@, k as int + 1, cs@.len() as int); }
                    return Err(e);
                },
            }
            k += 1;
        }
        Ok(true)
    }

    /// The values of a configuration when it is feasible: `None` for a
    /// configuration of the wrong length or one that violates a
    /// constraint, the constraints' error when checking them fails.
    pub fn feasible_values(&self, config: &[usize]) -> (r: Result<Option<Vec<i64>>, EvaluationError>)
        requires
            config@.len() == self.spec_num_vars() ==> self.spec_bound() <= i64::MAX && forall|i: int|
                0 <= i < config@.len() ==> #[trigger] config@[i] <= i64::MAX,
        ensures
            config@.len() != self.spec_num_vars() ==> r == Ok::<Option<Vec<i64>>, EvaluationError>(None),
            config@.len() == self.spec_num_vars() ==> {
                let vs = Seq::new(config@.len(), |i: int| decoded_values(config@, self.spec_bound())[i] as i64);
                match constraints_result(self.spec_constraints(), vs, self.spec_constraints().len() as int) {
                    Ok(true) => r matches Ok(Some(v)) && v@ == vs,
                    Ok(false) => r == Ok::<Option<Vec<i64>>, EvaluationError>(None),
                    Err(e) => r == Err::<Option<Vec<i64>>, EvaluationError>(e),
                }
            },
    {
        if config.len() != self.num_vars {
            return Ok(None);
        }
        let values = self.config_to_values(config);
        let ghost vs = Seq::new(config@.len(), |i: int| decoded_values(config@, self.spec_bound())[i] as i64);
        assert(values@ =~= vs);
        match self.constraints_satisfied(&values) {
            Ok(true) => Ok(Some(values)),
            Ok(false) => Ok(None),
            Err(e) => Err(e),
        }
    }
}

} // verus!
