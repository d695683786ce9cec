//! Consecutive Ones Matrix Augmentation: order the columns of a 0/1 matrix
//! so that turning at most `bound` zeros into ones makes every row's ones
//! consecutive.
use vstd::prelude::*;
use crate::models::algebraic::sparse_matrix_compression::{rows_view, uniform_rows};
use crate::topology::{is_permutation, check_permutation};
use crate::types::{ConstructionError, EvaluationError, Or};

verus! {

/// Entry of `row` at the column placed at position `p`.
pub open spec fn one_at(row: Seq<bool>, order: Seq<usize>, p: int) -> bool {
    row[order[p] as int]
}

/// First position among the first `k` whose column holds a one.
pub open spec fn first_one(row: Seq<bool>, order: Seq<usize>, k: int) -> Option<int>
    decreases k,
{
    if k <= 0 {
        None
    } else {
        match first_one(row, order, k - 1) {
            Some(f) => Some(f),
            None => if one_at(row, order, k - 1) { Some(k - 1) } else { None },
        }
    }
}

/// Last position among the first `k` whose column holds a one.
pub open spec fn last_one(row: Seq<bool>, order: Seq<usize>, k: int) -> Option<int>
    decreases k,
{
    if k <= 0 {
        None
    } else if one_at(row, order, k - 1) {
        Some(k - 1)
    } else {
        last_one(row, order, k - 1)
    }
}

/// Number of positions among the first `k` whose column holds a one.
pub open spec fn count_ones(row: Seq<bool>, order: Seq<usize>, k: int) -> nat
    decreases k,
{
    if k <= 0 {
        0
    } else {
        count_ones(row, order, k - 1) + if one_at(row, order, k - 1) { 1nat } else { 0nat }
    }
}

/// Zeros between the first and the last one of `row` in the column order.
pub open spec fn row_cost(row: Seq<bool>, order: Seq<usize>) -> nat {
    let k = order.len() as int;
    match (first_one(row, order, k), last_one(row, order, k)) {
        (Some(f), Some(l)) => (l - f + 1 - count_ones(row, order, k)) as nat,
        _ => 0,
    }
}

/// Sum of the costs of the first `k` rows.
pub open spec fn total_cost(m: Seq<Seq<bool>>, order: Seq<usize>, k: int) -> nat
    decreases k,
{
    if k <= 0 { 0 } else { total_cost(m, order, k - 1) + row_cost(m[k - 1], order) }
}

/// Where a running sum of row costs stands.
pub enum CostScan {
    /// Still within the bound, with this total.
    Within(nat),
    /// Stopped after the total first went past the bound.
    Exceeded(nat),
    /// A partial sum left `usize`.
    Overflow,
}

/// The row costs added in order, stopping once the total passes `bound`.
pub open spec fn cost_scan(m: Seq<Seq<bool>>, order: Seq<usize>, bound: int, k: int) -> CostScan
    decreases k,
{
    if k <= 0 {
        CostScan::Within(0)
    } else {
        match cost_scan(m, order, bound, k - 1) {
            CostScan::Within(t) => {
                let t2 = t + row_cost(m[k - 1], order);
                if t2 > usize::MAX { CostScan::Overflow } else if t2 > bound { CostScan::Exceeded(t2) } else { CostScan::Within(t2) }
            },
            other => other,
        }
    }
}

proof fn lemma_row_scan(row: Seq<bool>, order: Seq<usize>, k: int)
    requires
        0 <= k <= order.len(),
    ensures
        first_one(row, order, k) is Some <==> last_one(row, order, k) is Some,
        first_one(row, order, k) is None ==> count_ones(row, order, k) == 0,
        first_one(row, order, k) matches Some(f) ==> 0 <= f < k && (last_one(row, order, k) matches Some(l)
            && f <= l < k && count_ones(row, order, k) <= l - f + 1),
    decreases k,
{
    if k > 0 {
        lemma_row_scan(row, order, k - 1);
    }
}

proof fn lemma_scan_total(m: Seq<Seq<bool>>, order: Seq<usize>, bound: int, k: int)
    requires
        0 <= k,
        0 <= bound,
    ensures
        cost_scan(m, order, bound, k) matches CostScan::Within(t) ==> t == total_cost(m, order, k) && t <= bound && t <= usize::MAX,
        cost_scan(m, order, bound, k) matches CostScan::Exceeded(t) ==> total_cost(m, order, k) > bound && t > bound && t <= usize::MAX,
    decreases k,
{
    if k > 0 {
        lemma_scan_total(m, order, bound, k - 1);
    }
}

/// Given a 0/1 matrix and a bound, decide whether some column order needs
/// at most `bound` zeros turned into ones for every row's ones to be consecutive.
#[derive(Debug, Clone)]
pub struct ConsecutiveOnesMatrixAugmentation {
    matrix: Vec<Vec<bool>>,
    bound: i64,
}

impl ConsecutiveOnesMatrixAugmentation {
    /// The rows of the matrix.
    pub closed spec fn spec_rows(&self) -> Seq<Seq<bool>> {
        rows_view(self.matrix@)
    }

    /// The bound on the added ones.
    pub closed spec fn spec_bound(&self) -> i64 {
        self.bound
    }

    /// Number of columns (that of the first row, 0 without rows).
    pub open spec fn spec_cols(&self) -> nat {
        if self.spec_rows().len() == 0 { 0 } else { self.spec_rows()[0].len() }
    }

    /// Rows of one length and a nonnegative bound.
    pub open spec fn wf(&self) -> bool {
        &&& uniform_rows(self.spec_rows(), self.spec_cols())
        &&& self.spec_bound() >= 0
    }

    /// Creates an instance; panics on rows of different lengths or a negative bound.
    pub fn new(matrix: Vec<Vec<bool>>, bound: i64) -> (r: Self)
        requires
            matrix@.len() > 0 ==> uniform_rows(rows_view(matrix@), matrix@[0]@.len()),
            bound >= 0,
        ensures
            r.wf(),
            r.spec_rows() == rows_view(matrix@),
            r.spec_bound() == bound,
    {
        ConsecutiveOnesMatrixAugmentation { matrix, bound }
    }

    /// Creates an instance, or an error on rows of different lengths
    /// (`LengthMismatch`, checked first) or a negative bound (`InvalidValue`).
    pub fn try_new(matrix: Vec<Vec<bool>>, bound: i64) -> (r: Result<Self, ConstructionError>)
        ensures
            !(matrix@.len() > 0 ==> uniform_rows(rows_view(matrix@), matrix@[0]@.len()))
                ==> r == Err::<Self, ConstructionError>(ConstructionError::LengthMismatch),
            (matrix@.len() > 0 ==> uniform_rows(rows_view(matrix@), matrix@[0]@.len())) && bound < 0
                ==> r == Err::<Self, ConstructionError>(ConstructionError::InvalidValue),
            r is Ok <==> (matrix@.len() > 0 ==> uniform_rows(rows_view(matrix@), matrix@[0]@.len())) && bound >= 0,
            r matches Ok(p) ==> p.wf() && p.spec_rows() == rows_view(matrix@) && p.spec_bound() == bound,
    {
        let cols = if matrix.len() == 0 { 0 } else { matrix[0].len() };
        let mut i: usize = 0;
        while i < matrix.len()
            invariant
                i <= matrix@.len(),
                cols == (if matrix@.len() == 0 { 0 } else { matrix@[0]@.len() }),
                forall|j: int| 0 <= j < i ==> (#[trigger] rows_view(matrix@)[j]).len() == cols,
            decreases matrix.len() - i,
        {
            if matrix[i].len() != cols {
                assert(rows_view(matrix@)[i as int].len() != cols);
                return Err(ConstructionError::LengthMismatch);
            }
            i += 1;
        }
        if bound < 0 {
            return Err(ConstructionError::InvalidValue);
        }
        Ok(ConsecutiveOnesMatrixAugmentation { matrix, bound })
    }

    /// The matrix rows.
    pub fn matrix(&self) -> (r: &[Vec<bool>])
        ensures
            rows_view(r@) == self.spec_rows(),
    {
        self.matrix.as_slice()
    }

    /// The bound on the added ones.
    pub fn bound(&self) -> (r: i64)
        ensures
            r == self.spec_bound(),
    {
        self.bound
    }

    /// Number of rows.
    pub fn num_rows(&self) -> (r: usize)
        ensures
            r == self.spec_rows().len(),
    {
        self.matrix.len()
    }

    /// Number of columns.
    pub fn num_cols(&self) -> (r: usize)
        ensures
            r == self.spec_cols(),
    {
        if self.matrix.len() == 0 { 0 } else { self.matrix[0].len() }
    }

    /// Zeros between the first and the last one of `row` in the column order.
    fn row_augmentation_cost(row: &[bool], config: &[usize]) -> (r: usize)
        requires
            forall|p: int| 0 <= p < config@.len() ==> #[trigger] config@[p] < row@.len(),
        ensures
            r == row_cost(row@, config@),
    {
        let mut first: Option<usize> = None;
        let mut last: Option<usize> = None;
        let mut count: usize = 0;
        let mut p: usize = 0;
        while p < config.len()
            invariant
                forall|q: int| 0 <= q < config@.len() ==> #[trigger] config@[q] < row@.len(),
                p <= config@.len(),
                first == (match first_one(row@, config@, p as int) { Some(f) => Some(f as usize), None => None::<usize> }),
                last == (match last_one(row@, config@, p as int) { Some(l) => Some(l as usize), None => None::<usize> }),
                count == count_ones(row@, config@, p as int),
            decreases config.len() - p,
        {
            proof { lemma_row_scan(row@, config@, p as int); }
            if row[config[p]] {
                if first.is_none() {
                    first = Some(p);
                }
                last = Some(p);
                count += 1;
            }
            p += 1;
        }
        proof { lemma_row_scan(row@, config@, config@.len() as int); }
        match (first, last) {
            (Some(f), Some(l)) => l - f + 1 - count,
            _ => 0,
        }
    }

    /// The scan of the row costs for a column order that lists every
    /// column once; `None` for any other order.
    /// Whether the configuration lists every column exactly once.
    fn validate_permutation(&self, config: &[usize]) -> (r: bool)
        requires
            self.wf(),
        ensures
            r == is_permutation(config@, self.spec_cols()),
    {
        check_permutation(config, self.num_cols())
    }

    fn total_augmentation_cost(&self, config: &[usize]) -> (r: Result<Option<usize>, EvaluationError>)
        requires
            self.wf(),
        ensures
            !is_permutation(config@, self.spec_cols()) ==> r == Ok::<Option<usize>, EvaluationError>(None),
            is_permutation(config@, self.spec_cols()) ==> match cost_scan(self.spec_rows(), config@, self.spec_bound() as int, self.spec_rows().len() as int) {
                CostScan::Within(t) => r == Ok::<Option<usize>, EvaluationError>(Some(t as usize)),
                CostScan::Exceeded(t) => r == Ok::<Option<usize>, EvaluationError>(Some(t as usize)),
                CostScan::Overflow => r == Err::<Option<usize>, EvaluationError>(EvaluationError::IntegerOverflow),
            },
    {
        if !self.validate_permutation(config) {
            return Ok(None);
        }
        let ghost m = self.spec_rows();
        let ghost b = self.spec_bound() as int;
        let mut total: usize = 0;
        let mut i: usize = 0;
        while i < self.matrix.len()
            invariant
                self.wf(),
                m == self.spec_rows(),
                b == self.spec_bound() as int,
                is_permutation(config@, self.spec_cols()),
                i <= m.len(),
                cost_scan(m, config@, b, i as int) == CostScan::Within(total as nat),
            decreases self.matrix.len() - i,
        {
            let row = &self.matrix[i];
            assert(row@ == m[i as int]);
            assert(row@.len() == self.spec_cols());
            let c = Self::row_augmentation_cost(row.as_slice(), config);
            match total.checked_add(c) {
                None => {
                    proof { lemma_scan_overflow_stays(m, config@, b, i as int + 1, m.len() as int); }
                    return Err(EvaluationError::IntegerOverflow);
                },
                Some(t) => {
                    total = t;
                },
            }
            if (total as u64) > (self.bound as u64) {
                proof { lemma_scan_exceeded_stays(m, config@, b, i as int + 1, m.len() as int); }
                return Ok(Some(total));
            }
            i += 1;
        }
        Ok(Some(total))
    }

    /// Whether the column order needs at most `bound` added ones; an error
    /// unless it has one entry per column, each a column, or when the running
    /// sum of costs leaves `usize`.
    pub fn evaluate(&self, config: &Vec<usize>) -> (r: Result<Or, EvaluationError>)
        requires
            self.wf(),
        ensures
            (config@.len() != self.spec_cols() || exists|p: int| 0 <= p < config@.len() && #[trigger] config@[p] >= self.spec_cols())
                ==> r == Err::<Or, EvaluationError>(EvaluationError::InvalidConfiguration),
            (config@.len() == self.spec_cols() && forall|p: int| 0 <= p < config@.len() ==> #[trigger] config@[p] < self.spec_cols())
                ==> r == (if !is_permutation(config@, self.spec_cols()) {
                    Ok::<Or, EvaluationError>(Or(false))
                } else {
                    match cost_scan(self.spec_rows(), config@, self.spec_bound() as int, self.spec_rows().len() as int) {
                        CostScan::Within(t) => Ok::<Or, EvaluationError>(Or(true)),
                        CostScan::Exceeded(t) => Ok::<Or, EvaluationError>(Or(false)),
                        CostScan::Overflow => Err::<Or, EvaluationError>(EvaluationError::IntegerOverflow),
                    }
                }),
            r matches Ok(Or(true)) ==> is_permutation(config@, self.spec_cols())
                && total_cost(self.spec_rows(), config@, self.spec_rows().len() as int) <= self.spec_bound(),
            (is_permutation(config@, self.spec_cols()) && r matches Ok(Or(false)))
                ==> total_cost(self.spec_rows(), config@, self.spec_rows().len() as int) > self.spec_bound(),
    {
        let cols = self.num_cols();
        if config.len() != cols {
            return Err(EvaluationError::InvalidConfiguration);
        }
        let mut p: usize = 0;
        while p < config.len()
            invariant
                cols == self.spec_cols(),
                config@.len() == cols,
                p <= config@.len(),
                forall|q: int| 0 <= q < p ==> #[trigger] config@[q] < cols,
            decreases config.len() - p,
        {
            if config[p] >= cols {
                assert(config@[p as int] >= cols);
                return Err(EvaluationError::InvalidConfiguration);
            }
            p += 1;
        }
        proof {
            lemma_scan_total(self.spec_rows(), config@, self.spec_bound() as int, self.spec_rows().len() as int);
        }
        match self.total_augmentation_cost(config.as_slice()) {
            Err(e) => Err(e),
            Ok(None) => Ok(Or(false)),
            Ok(Some(cost)) => {
                assert(cost as u64 == cost as int);
                assert(self.bound as u64 == self.bound as int);
                Ok(Or((cost as u64) <= (self.bound as u64)))
            },
        }
    }

    /// One variable per column position, each a column.
    pub fn dimensions(&self) -> (r: Vec<usize>)
        ensures
            r@.len() == self.spec_cols(),
            forall|i: int| 0 <= i < r@.len() ==> #[trigger] r@[i] == self.spec_cols(),
    {
        let n = self.num_cols();
        crate::models::graph::uniform_dims(n, n)
    }
}

proof fn lemma_scan_overflow_stays(m: Seq<Seq<bool>>, order: Seq<usize>, bound: int, a: int, b: int)
    requires
        0 <= a <= b,
        cost_scan(m, order, bound, a) is Overflow,
    ensures
        cost_scan(m, order, bound, b) is Overflow,
    decreases b - a,
{
    if a < b {
        lemma_scan_overflow_stays(m, order, bound, a, b - 1);
    }
}

proof fn lemma_scan_exceeded_stays(m: Seq<Seq<bool>>, order: Seq<usize>, bound: int, a: int, b: int)
    requires
        0 <= a <= b,
        cost_scan(m, order, bound, a) is Exceeded,
    ensures
        cost_scan(m, order, bound, b) == cost_scan(m, order, bound, a),
    decreases b - a,
{
    if a < b {
        lemma_scan_exceeded_stays(m, order, bound, a, b - 1);
    }
}

} // verus!
