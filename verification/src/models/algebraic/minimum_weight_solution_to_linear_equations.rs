//! Minimum Weight Solution to Linear Equations (decision form).
use vstd::prelude::*;
use crate::types::Or;
use crate::sums::{checked_fold, selected_values, ints64, selected_sum64, checked_selected_sum};
use crate::models::graph::kernel::ones;
use crate::models::graph::props::{count_true, count_selected};

verus! {

/// Every row has `n` entries.
pub open spec fn rows_have_len(rows: Seq<Vec<i64>>, n: nat) -> bool {
    forall|i: int| 0 <= i < rows.len() ==> (#[trigger] rows[i])@.len() == n
}

/// The configuration has one 0/1 value per variable, at most `bound` ones.
pub open spec fn admissible(config: Seq<usize>, n: nat, bound: nat) -> bool {
    &&& config.len() == n
    &&& forall|i: int| 0 <= i < config.len() ==> #[trigger] config[i] <= 1
    &&& count_true(ones(config)) <= bound
}

/// Row `k` of the system holds: the sum of its coefficients at the chosen
/// variables is the right-hand side.
pub open spec fn row_holds(rows: Seq<Vec<i64>>, rhs: Seq<i64>, config: Seq<usize>, k: int) -> bool {
    selected_sum64(ones(config), rows[k]@) == Some(rhs[k] as int)
}

/// Summing every row reached (rows are checked in order until one fails)
/// stays within `i64`.
pub open spec fn rows_sum_in_range(rows: Seq<Vec<i64>>, rhs: Seq<i64>, config: Seq<usize>) -> bool {
    forall|k: int| 0 <= k < rows.len() && (forall|k2: int| 0 <= k2 < k ==> #[trigger] row_holds(rows, rhs, config, k2))
        ==> #[trigger] selected_sum64(ones(config), rows[k]@) is Some
}

/// Given an integer system `A x = b` and a bound, decide whether some 0/1
/// vector with at most `bound` ones solves it.
#[derive(Debug, Clone)]
pub struct MinimumWeightSolutionToLinearEquations {
    coefficients: Vec<Vec<i64>>,
    rhs: Vec<i64>,
    bound: usize,
}

impl MinimumWeightSolutionToLinearEquations {
    /// The coefficient rows.
    pub closed spec fn spec_coefficients(&self) -> Seq<Vec<i64>> {
        self.coefficients@
    }

    /// The right-hand side.
    pub closed spec fn spec_rhs(&self) -> Seq<i64> {
        self.rhs@
    }

    /// The weight bound.
    pub closed spec fn spec_bound(&self) -> nat {
        self.bound as nat
    }

    /// Number of variables: the length of the first row (0 without rows).
    pub open spec fn spec_num_variables(&self) -> nat {
        if self.spec_coefficients().len() == 0 { 0 } else { self.spec_coefficients()[0]@.len() }
    }

    /// One right-hand side per row and a rectangular matrix.
    pub open spec fn wf(&self) -> bool {
        &&& self.spec_rhs().len() == self.spec_coefficients().len()
        &&& rows_have_len(self.spec_coefficients(), self.spec_num_variables())
    }

    /// Creates an instance; panics unless there is one right-hand side per row
    /// and the matrix is rectangular.
    pub fn new(coefficients: Vec<Vec<i64>>, rhs: Vec<i64>, bound: usize) -> (r: Self)
        requires
            coefficients@.len() == rhs@.len(),
            coefficients@.len() > 0 ==> rows_have_len(coefficients@, coefficients@[0]@.len()),
        ensures
            r.wf(),
            r.spec_coefficients() == coefficients@,
            r.spec_rhs() == rhs@,
            r.spec_bound() == bound,
    {
        MinimumWeightSolutionToLinearEquations { coefficients, rhs, bound }
    }

    /// The coefficient rows.
    pub fn coefficients(&self) -> (r: &[Vec<i64>])
        ensures
            r@ == self.spec_coefficients(),
    {
        self.coefficients.as_slice()
    }

    /// The right-hand side.
    pub fn rhs(&self) -> (r: &[i64])
        ensures
            r@ == self.spec_rhs(),
    {
        self.rhs.as_slice()
    }

    /// The weight bound.
    pub fn bound(&self) -> (r: usize)
        ensures
            r == self.spec_bound(),
    {
        self.bound
    }

    /// Number of variables.
    pub fn num_variables(&self) -> (r: usize)
        ensures
            r == self.spec_num_variables(),
    {
        if self.coefficients.len() == 0 { 0 } else { self.coefficients[0].len() }
    }

    /// Number of equations.
    pub fn num_equations(&self) -> (r: usize)
        ensures
            r == self.spec_coefficients().len(),
    {
        self.coefficients.len()
    }

    /// Whether the configuration is an admissible 0/1 vector solving every
    /// equation. Panics when a row sum that is computed overflows.
    pub fn evaluate(&self, config: &[usize]) -> (r: Or)
        requires
            self.wf(),
            admissible(config@, self.spec_num_variables(), self.spec_bound())
                ==> rows_sum_in_range(self.spec_coefficients(), self.spec_rhs(), config@),
        ensures
            r == Or(admissible(config@, self.spec_num_variables(), self.spec_bound())
                && forall|k: int| 0 <= k < self.spec_coefficients().len() ==> #[trigger] row_holds(self.spec_coefficients(), self.spec_rhs(), config@, k)),
    {
        let n = self.num_variables();
        if config.len() != n {
            return Or(false);
        }
        let mut i: usize = 0;
        while i < config.len()
            invariant
                i <= config@.len(),
                forall|q: int| 0 <= q < i ==> #[trigger] config@[q] <= 1,
            decreases config.len() - i,
        {
            if config[i] > 1 {
                return Or(false);
            }
            i += 1;
        }
        let sel = crate::models::graph::maximum_edge_weighted_k_clique::ones_vec(config);
        if count_selected(sel.as_slice()) > self.bound {
            return Or(false);
        }
        let mut k: usize = 0;
        while k < self.coefficients.len()
            invariant
                self.wf(),
                sel@ == ones(config@),
                config@.len() == self.spec_num_variables(),
                admissible(config@, self.spec_num_variables(), self.spec_bound()),
                rows_sum_in_range(self.coefficients@, self.rhs@, config@),
                k <= self.coefficients@.len(),
                forall|k2: int| 0 <= k2 < k ==> #[trigger] row_holds(self.coefficients@, self.rhs@, config@, k2),
            decreases self.coefficients.len() - k,
        {
            assert(selected_sum64(ones(config@), self.coefficients@[k as int]@) is Some);
            assert(self.coefficients@[k as int]@.len() == config@.len());
            let s = checked_selected_sum(&sel, self.coefficients[k].as_slice());
            match s {
                Ok(v) => {
                    if v != self.rhs[k] {
                        proof {
                            crate::sums::lemma_checked_fold_range(selected_values(ones(config@), ints64(self.coefficients@[k as int]@)), i64::MIN as int, i64::MAX as int);
                            assert(!row_holds(self.coefficients@, self.rhs@, config@, k as int));
                        }
                        return Or(false);
                    }
                },
                Err(_) => {
                    return Or(false);
                },
            }
            k += 1;
        }
        Or(true)
    }
}

} // verus!
