//! Feasible Basis Extension: given an `m x n` integer matrix `A` (`m < n`),
//! a vector `a_bar` of length `m` and a set `S` of fewer than `m` required
//! columns, decide whether some basis `B` of `m` columns containing `S`
//! makes `A_B` nonsingular with `A_B^{-1} a_bar >= 0`.
use vstd::prelude::*;
use crate::types::Or;
use crate::linalg::{int_row, int_rows, nonsingular, has_nonneg_solution, nonsingular_nonneg_solution};
use crate::models::graph::uniform_dims;

verus! {

/// Every row has `n` entries.
pub open spec fn rectangular(rows: Seq<Vec<i64>>, n: nat) -> bool {
    forall|i: int| 0 <= i < rows.len() ==> (#[trigger] rows[i])@.len() == n
}

/// No index occurs twice.
pub open spec fn distinct(s: Seq<usize>) -> bool {
    forall|i: int, j: int| 0 <= i < j < s.len() ==> #[trigger] s[i] != #[trigger] s[j]
}

/// The columns below `c` that are not required, in increasing order.
pub open spec fn free_below(required: Seq<usize>, c: nat) -> Seq<usize>
    decreases c,
{
    if c == 0 {
        Seq::empty()
    } else {
        let prev = free_below(required, (c - 1) as nat);
        if required.contains((c - 1) as usize) {
            prev
        } else {
            prev.push((c - 1) as usize)
        }
    }
}

/// The free columns whose variable is 1, in order.
pub open spec fn chosen(free: Seq<usize>, config: Seq<usize>) -> Seq<usize>
    decreases config.len(),
{
    if config.len() == 0 {
        Seq::empty()
    } else {
        let prev = chosen(free, config.drop_last());
        if config.last() == 1 {
            prev.push(free[config.len() - 1])
        } else {
            prev
        }
    }
}

/// The square system `A_B`: column `j` is column `cols[j]` of the matrix.
pub open spec fn basis_system(matrix: Seq<Vec<i64>>, cols: Seq<usize>) -> Seq<Seq<int>> {
    Seq::new(matrix.len(), |i: int| Seq::new(cols.len(), |j: int| matrix[i]@[cols[j] as int] as int))
}

/// The right-hand side as integers.
pub open spec fn int_rhs(rhs: Seq<i64>) -> Seq<int> {
    Seq::new(rhs.len(), |i: int| rhs[i] as int)
}

/// The columns `cols` form a feasible basis: `A_B` is nonsingular and
/// `A_B^{-1} a_bar >= 0`.
pub open spec fn feasible_basis(matrix: Seq<Vec<i64>>, rhs: Seq<i64>, cols: Seq<usize>) -> bool {
    nonsingular(basis_system(matrix, cols), matrix.len() as nat) && has_nonneg_solution(
        basis_system(matrix, cols),
        int_rhs(rhs),
        matrix.len() as nat,
    )
}

/// The Feasible Basis Extension problem.
#[derive(Debug, Clone)]
pub struct FeasibleBasisExtension {
    matrix: Vec<Vec<i64>>,
    rhs: Vec<i64>,
    required_columns: Vec<usize>,
}

/// Whether `x` occurs in `v`.
fn occurs(v: &Vec<usize>, x: usize) -> (r: bool)
    ensures
        r == v@.contains(x),
{
    let mut i: usize = 0;
    while i < v.len()
        invariant
            i <= v.len(),
            forall|k: int| 0 <= k < i ==> v@[k] != x,
        decreases v.len() - i,
    {
        if v[i] == x {
            return true;
        }
        i += 1;
    }
    false
}

impl FeasibleBasisExtension {
    /// The matrix `A`.
    pub closed spec fn spec_matrix(&self) -> Seq<Vec<i64>> {
        self.matrix@
    }

    /// The right-hand side `a_bar`.
    pub closed spec fn spec_rhs(&self) -> Seq<i64> {
        self.rhs@
    }

    /// The required columns `S`.
    pub closed spec fn spec_required(&self) -> Seq<usize> {
        self.required_columns@
    }

    /// Number of rows `m`.
    pub open spec fn spec_m(&self) -> nat {
        self.spec_matrix().len()
    }

    /// Number of columns `n`.
    pub open spec fn spec_n(&self) -> nat {
        self.spec_matrix()[0]@.len()
    }

    /// The free (non-required) columns, in increasing order.
    pub open spec fn spec_free(&self) -> Seq<usize> {
        free_below(self.spec_required(), self.spec_n())
    }

    /// The instance rules that `new` checks.
    pub open spec fn wf(&self) -> bool {
        &&& self.spec_m() > 0
        &&& rectangular(self.spec_matrix(), self.spec_n())
        &&& self.spec_m() < self.spec_n()
        &&& self.spec_rhs().len() == self.spec_m()
        &&& self.spec_required().len() < self.spec_m()
        &&& forall|i: int| 0 <= i < self.spec_required().len() ==> #[trigger] self.spec_required()[i] < self.spec_n()
        &&& distinct(self.spec_required())
    }

    /// A configuration that names a basis: one 0/1 variable per free column,
    /// exactly `m - |S|` of them 1.
    pub open spec fn admissible(&self, config: Seq<usize>) -> bool {
        &&& config.len() == self.spec_free().len()
        &&& forall|i: int| 0 <= i < config.len() ==> #[trigger] config[i] < 2
        &&& chosen(self.spec_free(), config).len() == self.spec_m() - self.spec_required().len()
    }

    /// Creates an instance; panics when the matrix is empty or not
    /// rectangular, has no more columns than rows, `a_bar` does not have one
    /// entry per row, or `S` is not a set of fewer than `m` column indices.
    pub fn new(matrix: Vec<Vec<i64>>, rhs: Vec<i64>, required_columns: Vec<usize>) -> (r: Self)
        requires
            matrix@.len() > 0,
            rectangular(matrix@, matrix@[0]@.len()),
            matrix@.len() < matrix@[0]@.len(),
            rhs@.len() == matrix@.len(),
            required_columns@.len() < matrix@.len(),
            forall|i: int| 0 <= i < required_columns@.len() ==> #[trigger] required_columns@[i] < matrix@[0]@.len(),
            distinct(required_columns@),
        ensures
            r.wf(),
            r.spec_matrix() == matrix@,
            r.spec_rhs() == rhs@,
            r.spec_required() == required_columns@,
    {
        FeasibleBasisExtension { matrix, rhs, required_columns }
    }

    /// The matrix `A`.
    pub fn matrix(&self) -> (r: &[Vec<i64>])
        ensures
            r@ == self.spec_matrix(),
    {
        self.matrix.as_slice()
    }

    /// The right-hand side `a_bar`.
    pub fn rhs(&self) -> (r: &[i64])
        ensures
            r@ == self.spec_rhs(),
    {
        self.rhs.as_slice()
    }

    /// The required columns `S`.
    pub fn required_columns(&self) -> (r: &[usize])
        ensures
            r@ == self.spec_required(),
    {
        self.required_columns.as_slice()
    }

    /// Number of rows `m`.
    pub fn num_rows(&self) -> (r: usize)
        ensures
            r == self.spec_m(),
    {
        self.matrix.len()
    }

    /// Number of columns `n`.
    pub fn num_columns(&self) -> (r: usize)
        requires
            self.wf(),
        ensures
            r == self.spec_n(),
    {
        self.matrix[0].len()
    }

    /// Number of required columns `|S|`.
    pub fn num_required(&self) -> (r: usize)
        ensures
            r == self.spec_required().len(),
    {
        self.required_columns.len()
    }

    /// The free (non-required) columns, in increasing order.
    fn free_columns(&self) -> (r: Vec<usize>)
        requires
            self.wf(),
        ensures
            r@ == self.spec_free(),
    {
        let n = self.num_columns();
        let mut r: Vec<usize> = Vec::new();
        let mut c: usize = 0;
        while c < n
            invariant
                c <= n,
                n == self.spec_n(),
                r@ == free_below(self.spec_required(), c as nat),
            decreases n - c,
        {
            if !occurs(&self.required_columns, c) {
                r.push(c);
            }
            c += 1;
        }
        r
    }

    /// Domain sizes: one binary variable per free column.
    pub fn dims(&self) -> (r: Vec<usize>)
        requires
            self.wf(),
        ensures
            r@.len() == self.spec_n() - self.spec_required().len(),
            forall|i: int| 0 <= i < r@.len() ==> #[trigger] r@[i] == 2,
    {
        uniform_dims(self.num_columns() - self.num_required(), 2)
    }

    /// Whether the columns `basis_cols` form a feasible basis, decided
    /// exactly.
    fn check_feasible_basis(&self, basis_cols: &Vec<usize>) -> (r: bool)
        requires
            self.wf(),
            basis_cols@.len() == self.spec_m(),
            forall|j: int| 0 <= j < basis_cols@.len() ==> #[trigger] basis_cols@[j] < self.spec_n(),
        ensures
            r == feasible_basis(self.spec_matrix(), self.spec_rhs(), basis_cols@),
    {
        let m = self.num_rows();
        let ghost sys = basis_system(self.spec_matrix(), basis_cols@);
        let mut a: Vec<Vec<i128>> = Vec::new();
        let mut b: Vec<i128> = Vec::new();
        let mut i: usize = 0;
        while i < m
            invariant
                i <= m,
                m == self.spec_m(),
                self.wf(),
                basis_cols@.len() == m,
                forall|j: int| 0 <= j < m ==> #[trigger] basis_cols@[j] < self.spec_n(),
                sys == basis_system(self.spec_matrix(), basis_cols@),
                a.len() == i,
                b.len() == i,
                forall|k: int| 0 <= k < i ==> #[trigger] int_rows(a@)[k] == sys[k],
                forall|k: int| 0 <= k < i ==> #[trigger] int_row(b@)[k] == self.spec_rhs()[k] as int,
            decreases m - i,
        {
            let row_src = &self.matrix[i];
            assert(row_src@.len() == self.spec_n());
            let mut row: Vec<i128> = Vec::new();
            let mut j: usize = 0;
            while j < m
                invariant
                    j <= m,
                    i < m,
                    basis_cols@.len() == m,
                    row_src@.len() == self.spec_n(),
                    row_src@ == self.spec_matrix()[i as int]@,
                    forall|q: int| 0 <= q < m ==> #[trigger] basis_cols@[q] < self.spec_n(),
                    row.len() == j,
                    forall|q: int| 0 <= q < j ==> #[trigger] row@[q] == row_src@[basis_cols@[q] as int] as i128,
                decreases m - j,
            {
                row.push(row_src[basis_cols[j]] as i128);
                j += 1;
            }
            assert(int_row(row@) =~= sys[i as int]);
            let ghost pa = int_rows(a@);
            let ghost pb = int_row(b@);
            a.push(row);
            b.push(self.rhs[i] as i128);
            assert(int_rows(a@) =~= pa.push(int_row(row@)));
            assert(int_row(b@) =~= pb.push(self.rhs@[i as int] as int));
            i += 1;
        }
        assert(int_rows(a@) =~= sys);
        assert(int_row(b@) =~= int_rhs(self.spec_rhs()));
        assert forall|k: int| 0 <= k < a.len() implies (#[trigger] a@[k])@.len() == a.len() by {
            assert(int_rows(a@)[k].len() == a@[k]@.len());
        }
        match nonsingular_nonneg_solution(&a, &b) {
            Some(v) => v,
            None => false,
        }
    }

    /// Evaluates a configuration: `Or(false)` unless it has one 0/1 value
    /// per free column with exactly `m - |S|` ones; otherwise whether the
    /// required columns followed by the chosen ones form a feasible basis.
    pub fn evaluate(&self, config: &[usize]) -> (r: Or)
        requires
            self.wf(),
        ensures
            !self.admissible(config@) ==> r == Or(false),
            self.admissible(config@) ==> r == Or(feasible_basis(
                self.spec_matrix(),
                self.spec_rhs(),
                self.spec_required() + chosen(self.spec_free(), config@),
            )),
    {
        let free = self.free_columns();
        if config.len() != free.len() {
            return Or(false);
        }
        let mut i: usize = 0;
        while i < config.len()
            invariant
                i <= config.len(),
                forall|k: int| 0 <= k < i ==> #[trigger] config@[k] < 2,
            decreases config.len() - i,
        {
            if config[i] >= 2 {
                return Or(false);
            }
            i += 1;
        }
        let m = self.num_rows();
        let s = self.num_required();
        let needed = m - s;
        let mut selected: Vec<usize> = Vec::new();
        i = 0;
        while i < config.len()
            invariant
                i <= config.len(),
                config.len() == free.len(),
                free@ == self.spec_free(),
                selected@ == chosen(free@, config@.take(i as int)),
            decreases config.len() - i,
        {
            assert(config@.take(i as int + 1).drop_last() =~= config@.take(i as int));
            if config[i] == 1 {
                selected.push(free[i]);
            }
            i += 1;
        }
        assert(config@.take(config.len() as int) =~= config@);
        if selected.len() != needed {
            return Or(false);
        }
        let mut basis: Vec<usize> = self.required_columns.clone();
        assert(basis@ == self.spec_required());
        let ghost req_len = basis@.len();
        i = 0;
        while i < selected.len()
            invariant
                i <= selected.len(),
                basis@ == self.spec_required() + selected@.take(i as int),
            decreases selected.len() - i,
        {
            basis.push(selected[i]);
            assert(selected@.take(i as int + 1) =~= selected@.take(i as int).push(selected@[i as int]));
            i += 1;
        }
        assert(selected@.take(selected.len() as int) =~= selected@);
        proof {
            lemma_free_below_bounds(self.spec_required(), self.spec_n());
            lemma_chosen_from(free@, config@);
        }
        Or(self.check_feasible_basis(&basis))
    }
}

/// Every free column is below `c`.
proof fn lemma_free_below_bounds(required: Seq<usize>, c: nat)
    ensures
        forall|j: int| 0 <= j < free_below(required, c).len() ==> #[trigger] free_below(required, c)[j] < c,
    decreases c,
{
    if c > 0 {
        lemma_free_below_bounds(required, (c - 1) as nat);
        let prev = free_below(required, (c - 1) as nat);
        let cur = free_below(required, c);
        assert forall|j: int| 0 <= j < cur.len() implies #[trigger] cur[j] < c by {
            if j < prev.len() {
                assert(cur[j] == prev[j]);
            }
        }
    }
}

/// Every chosen column is one of the free ones.
proof fn lemma_chosen_from(free: Seq<usize>, config: Seq<usize>)
    requires
        config.len() <= free.len(),
    ensures
        forall|j: int| 0 <= j < chosen(free, config).len() ==> free.contains(#[trigger] chosen(free, config)[j]),
    decreases config.len(),
{
    if config.len() > 0 {
        lemma_chosen_from(free, config.drop_last());
        let prev = chosen(free, config.drop_last());
        let cur = chosen(free, config);
        assert forall|j: int| 0 <= j < cur.len() implies free.contains(#[trigger] cur[j]) by {
            if j < prev.len() {
                assert(cur[j] == prev[j]);
                assert(free.contains(prev[j]));
            } else {
                let k = config.len() - 1;
                assert(cur[j] == free[k]);
            }
        }
    }
}

} // verus!
