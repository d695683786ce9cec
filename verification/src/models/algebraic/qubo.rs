//! Quadratic Unconstrained Binary Optimization.
use vstd::prelude::*;
use crate::types::{Min, EvaluationError, ConstructionError};
use crate::sums::{checked_fold, lemma_fold_push};

verus! {

/// The coefficients `m[i][j]` for `i <= j < k` with both `x_i` and `x_j` set, in column order.
pub open spec fn row_terms(m: Seq<Vec<i64>>, x: Seq<bool>, i: int, k: int) -> Seq<int>
    decreases k - i,
{
    if k <= i {
        Seq::empty()
    } else {
        let rest = row_terms(m, x, i, k - 1);
        if x[i] && x[k - 1] {
            rest.push(m[i]@[k - 1] as int)
        } else {
            rest
        }
    }
}

/// The coefficients of the first `r` rows, row by row (each row from its
/// diagonal to column `n - 1`).
pub open spec fn all_terms(m: Seq<Vec<i64>>, x: Seq<bool>, r: int, n: int) -> Seq<int>
    decreases r,
{
    if r <= 0 {
        Seq::empty()
    } else {
        all_terms(m, x, r - 1, n) + row_terms(m, x, r - 1, n)
    }
}

/// The objective `sum_{i <= j} Q[i][j] x_i x_j`, summed row-major with
/// checked `i64` arithmetic (`None` on overflow).
pub open spec fn qubo_energy(m: Seq<Vec<i64>>, x: Seq<bool>) -> Option<int> {
    checked_fold(all_terms(m, x, m.len() as int, m.len() as int), i64::MIN as int, i64::MAX as int)
}

/// The matrix is square.
pub open spec fn square(m: Seq<Vec<i64>>) -> bool {
    forall|i: int| 0 <= i < m.len() ==> (#[trigger] m[i])@.len() == m.len()
}

/// Entry `(i, j)` of the matrix built from linear and quadratic terms after
/// the first `k` quadratic terms: a term `((p, q), v)` is stored at
/// `(min(p, q), max(p, q))`, later terms overwriting earlier ones, and the
/// diagonal starts with the linear terms.
pub open spec fn entry_after(linear: Seq<i64>, quad: Seq<((usize, usize), i64)>, k: int, i: int, j: int) -> i64
    decreases k,
{
    if k <= 0 {
        if i == j { linear[i] } else { 0 }
    } else {
        let t = quad[k - 1];
        let (p, q) = if t.0.0 < t.0.1 { (t.0.0, t.0.1) } else { (t.0.1, t.0.0) };
        if p as int == i && q as int == j {
            t.1
        } else {
            entry_after(linear, quad, k - 1, i, j)
        }
    }
}

/// Given a square matrix `Q`, find a 0/1 vector minimizing `sum_{i <= j} Q[i][j] x_i x_j`.
#[derive(Debug, Clone)]
pub struct QUBO {
    num_vars: usize,
    matrix: Vec<Vec<i64>>,
}

fn zero_matrix(n: usize) -> (r: Vec<Vec<i64>>)
    ensures
        r@.len() == n,
        forall|i: int, j: int| 0 <= i < n && 0 <= j < n ==> #[trigger] r@[i]@[j] == 0,
        square(r@),
{
    let mut r: Vec<Vec<i64>> = Vec::new();
    let mut i: usize = 0;
    while i < n
        invariant
            i <= n,
            r@.len() == i,
            forall|a: int| 0 <= a < i ==> (#[trigger] r@[a])@.len() == n,
            forall|a: int, b: int| 0 <= a < i && 0 <= b < n ==> #[trigger] r@[a]@[b] == 0,
        decreases n - i,
    {
        let mut row: Vec<i64> = Vec::new();
        let mut j: usize = 0;
        while j < n
            invariant
                j <= n,
                row@.len() == j,
                forall|b: int| 0 <= b < j ==> #[trigger] row@[b] == 0,
            decreases n - j,
        {
            row.push(0);
            j += 1;
        }
        r.push(row);
        i += 1;
    }
    r
}

/// `m[i][j] = v` on a square matrix.
fn set_entry(m: &mut Vec<Vec<i64>>, i: usize, j: usize, v: i64)
    requires
        square(old(m)@),
        i < old(m)@.len(),
        j < old(m)@.len(),
    ensures
        square(final(m)@),
        final(m)@.len() == old(m)@.len(),
        forall|a: int, b: int| 0 <= a < final(m)@.len() && 0 <= b < final(m)@.len() ==>
            #[trigger] final(m)@[a]@[b] == if a == i && b == j { v } else { old(m)@[a]@[b] },
{
    let mut row = m[i].clone();
    assert(row@ =~= old(m)@[i as int]@);
    row.set(j, v);
    m.set(i, row);
}

impl QUBO {
    /// Number of variables.
    pub closed spec fn spec_num_vars(&self) -> nat {
        self.num_vars as nat
    }

    /// The coefficient matrix.
    pub closed spec fn spec_matrix(&self) -> Seq<Vec<i64>> {
        self.matrix@
    }

    /// A square matrix with one row per variable.
    pub open spec fn wf(&self) -> bool {
        self.spec_matrix().len() == self.spec_num_vars() && square(self.spec_matrix())
    }

    /// An instance with the given square matrix, or a length-mismatch error.
    pub fn from_matrix(matrix: Vec<Vec<i64>>) -> (r: Result<Self, ConstructionError>)
        ensures
            r is Ok <==> square(matrix@),
            r matches Ok(p) ==> p.wf() && p.spec_matrix() == matrix@,
    {
        let n = matrix.len();
        let mut i: usize = 0;
        while i < n
            invariant
                n == matrix@.len(),
                i <= n,
                forall|a: int| 0 <= a < i ==> (#[trigger] matrix@[a])@.len() == n,
            decreases n - i,
        {
            if matrix[i].len() != n {
                return Err(ConstructionError::LengthMismatch);
            }
            i += 1;
        }
        Ok(QUBO { num_vars: n, matrix })
    }

    /// An instance from sparse entries `(row, column, value)` over
    /// `num_vars` variables: `OutOfRange` when an index is not below
    /// `num_vars`, else `InvalidValue` when two entries share an index pair,
    /// else the matrix holding each entry's value at its index pair and 0
    /// elsewhere.
    pub fn from_entries(num_vars: usize, entries: Vec<(usize, usize, i64)>) -> (r: Result<Self, ConstructionError>)
        ensures
            (exists|k: int| 0 <= k < entries@.len() && (#[trigger] entries@[k].0 >= num_vars || entries@[k].1 >= num_vars))
                ==> r == Err::<Self, ConstructionError>(ConstructionError::OutOfRange),
            (forall|k: int| 0 <= k < entries@.len() ==> #[trigger] entries@[k].0 < num_vars && entries@[k].1 < num_vars)
                ==> (r is Err <==> exists|a: int, b: int| 0 <= a < b < entries@.len()
                    && #[trigger] entries@[a].0 == #[trigger] entries@[b].0 && entries@[a].1 == entries@[b].1),
            r is Err ==> r == Err::<Self, ConstructionError>(ConstructionError::OutOfRange) || r == Err::<Self, ConstructionError>(ConstructionError::InvalidValue),
            r matches Ok(p) ==> p.wf() && p.spec_num_vars() == num_vars
                && (forall|k: int| 0 <= k < entries@.len() ==> #[trigger] p.spec_matrix()[entries@[k].0 as int]@[entries@[k].1 as int] == entries@[k].2)
                && (forall|i: int, j: int| 0 <= i < num_vars && 0 <= j < num_vars && (forall|k: int| 0 <= k < entries@.len()
                    ==> !(#[trigger] entries@[k].0 == i && entries@[k].1 == j)) ==> #[trigger] p.spec_matrix()[i]@[j] == 0),
    {
        let n = num_vars;
        let mut k: usize = 0;
        while k < entries.len()
            invariant
                k <= entries@.len(),
                n == num_vars,
                forall|q: int| 0 <= q < k ==> #[trigger] entries@[q].0 < n && entries@[q].1 < n,
            decreases entries.len() - k,
        {
            let (r0, c0, _) = entries[k];
            assert(entries@[k as int].0 == r0 && entries@[k as int].1 == c0);
            if r0 >= n || c0 >= n {
                return Err(ConstructionError::OutOfRange);
            }
            k += 1;
        }
        let mut m = zero_matrix(n);
        let mut seen: Vec<Vec<bool>> = Vec::new();
        let mut i: usize = 0;
        while i < n
            invariant
                i <= n,
                seen@.len() == i,
                forall|a: int| 0 <= a < i ==> (#[trigger] seen@[a])@.len() == n,
                forall|a: int, b: int| 0 <= a < i && 0 <= b < n ==> !#[trigger] seen@[a]@[b],
            decreases n - i,
        {
            let mut row: Vec<bool> = Vec::new();
            let mut j: usize = 0;
            while j < n
                invariant
                    j <= n,
                    row@.len() == j,
                    forall|b: int| 0 <= b < j ==> !#[trigger] row@[b],
                decreases n - j,
            {
                row.push(false);
                j += 1;
            }
            seen.push(row);
            i += 1;
        }
        k = 0;
        while k < entries.len()
            invariant
                k <= entries@.len(),
                n == num_vars,
                forall|q: int| 0 <= q < entries@.len() ==> #[trigger] entries@[q].0 < n && entries@[q].1 < n,
                m@.len() == n,
                square(m@),
                seen@.len() == n,
                forall|a: int| 0 <= a < n ==> (#[trigger] seen@[a])@.len() == n,
                forall|a: int, b: int| 0 <= a < b < k ==> !(#[trigger] entries@[a].0 == #[trigger] entries@[b].0
                    && entries@[a].1 == entries@[b].1),
                forall|a: int, b: int| 0 <= a < n && 0 <= b < n ==> (#[trigger] seen@[a]@[b] <==> exists|q: int|
                    0 <= q < k && #[trigger] entries@[q].0 == a && entries@[q].1 == b),
                forall|q: int| 0 <= q < k ==> #[trigger] m@[entries@[q].0 as int]@[entries@[q].1 as int] == entries@[q].2,
                forall|a: int, b: int| 0 <= a < n && 0 <= b < n && !seen@[a]@[b] ==> #[trigger] m@[a]@[b] == 0,
            decreases entries.len() - k,
        {
            let (r, c, v) = entries[k];
            if seen[r][c] {
                proof {
                    let q = choose|q: int| 0 <= q < k && #[trigger] entries@[q].0 == r && entries@[q].1 == c;
                    assert(entries@[q].0 == entries@[k as int].0 && entries@[q].1 == entries@[k as int].1);
                    assert forall|q2: int| 0 <= q2 < entries@.len() implies !(#[trigger] entries@[q2].0 >= num_vars
                        || entries@[q2].1 >= num_vars) by {
                        assert(entries@[q2].0 < n && entries@[q2].1 < n);
                    }
                }
                return Err(ConstructionError::InvalidValue);
            }
            let ghost m0 = m@;
            let ghost s0 = seen@;
            set_entry(&mut m, r, c, v);
            let mut srow = seen[r].clone();
            assert(srow@ =~= s0[r as int]@);
            srow.set(c, true);
            seen.set(r, srow);
            proof {
                assert forall|a: int, b: int| 0 <= a < n && 0 <= b < n implies (#[trigger] seen@[a]@[b] <==> exists|q: int|
                    0 <= q < k + 1 && #[trigger] entries@[q].0 == a && entries@[q].1 == b) by {
                    if a == r && b == c {
                        assert(entries@[k as int].0 == a && entries@[k as int].1 == b);
                    } else {
                        assert(seen@[a]@[b] == s0[a]@[b]);
                        if exists|q: int| 0 <= q < k + 1 && #[trigger] entries@[q].0 == a && entries@[q].1 == b {
                            let q = choose|q: int| 0 <= q < k + 1 && #[trigger] entries@[q].0 == a && entries@[q].1 == b;
                            assert(q < k);
                        }
                    }
                }
                assert forall|q: int| 0 <= q < k + 1 implies #[trigger] m@[entries@[q].0 as int]@[entries@[q].1 as int] == entries@[q].2 by {
                    if q < k {
                        assert(s0[entries@[q].0 as int]@[entries@[q].1 as int]);
                    }
                }
                assert forall|a: int, b: int| 0 <= a < k + 1 && a < b < k + 1 implies !(#[trigger] entries@[a].0 == #[trigger] entries@[b].0
                    && entries@[a].1 == entries@[b].1) by {
                    if b == k {
                        if entries@[a].0 == entries@[b].0 && entries@[a].1 == entries@[b].1 {
                            assert(s0[r as int]@[c as int]);
                        }
                    }
                }
            }
            k += 1;
        }
        proof {
            assert forall|i2: int, j2: int| 0 <= i2 < n && 0 <= j2 < n && (forall|q: int| 0 <= q < entries@.len()
                ==> !(#[trigger] entries@[q].0 == i2 && entries@[q].1 == j2)) implies #[trigger] m@[i2]@[j2] == 0 by {
                if seen@[i2]@[j2] {
                    let q = choose|q: int| 0 <= q < k && #[trigger] entries@[q].0 == i2 && entries@[q].1 == j2;
                    assert(!(entries@[q].0 == i2 && entries@[q].1 == j2));
                }
            }
        }
        Ok(QUBO { num_vars: n, matrix: m })
    }

    /// An instance from linear terms (the diagonal) and quadratic terms
    /// `((i, j), v)` (stored above the diagonal, later terms overwriting
    /// earlier ones), or an out-of-range error.
    pub fn new(linear: Vec<i64>, quadratic: Vec<((usize, usize), i64)>) -> (r: Result<Self, ConstructionError>)
        ensures
            r is Err <==> exists|k: int| 0 <= k < quadratic@.len()
                && (#[trigger] quadratic@[k].0.0 >= linear@.len() || quadratic@[k].0.1 >= linear@.len()),
            r matches Ok(p) ==> p.wf() && p.spec_num_vars() == linear@.len()
                && forall|i: int, j: int| 0 <= i < linear@.len() && 0 <= j < linear@.len() ==>
                    #[trigger] p.spec_matrix()[i]@[j] == entry_after(linear@, quadratic@, quadratic@.len() as int, i, j),
    {
        let n = linear.len();
        let mut matrix = zero_matrix(n);
        let mut d: usize = 0;
        while d < n
            invariant
                n == linear@.len(),
                d <= n,
                matrix@.len() == n,
                square(matrix@),
                forall|i: int, j: int| 0 <= i < n && 0 <= j < n ==>
                    #[trigger] matrix@[i]@[j] == if i == j && i < d { linear@[i] } else { 0 },
            decreases n - d,
        {
            set_entry(&mut matrix, d, d, linear[d]);
            d += 1;
        }
        let mut k: usize = 0;
        while k < quadratic.len()
            invariant
                n == linear@.len(),
                k <= quadratic@.len(),
                matrix@.len() == n,
                square(matrix@),
                forall|q: int| 0 <= q < k ==> (#[trigger] quadratic@[q]).0.0 < n && quadratic@[q].0.1 < n,
                forall|i: int, j: int| 0 <= i < n && 0 <= j < n ==>
                    #[trigger] matrix@[i]@[j] == entry_after(linear@, quadratic@, k as int, i, j),
            decreases quadratic.len() - k,
        {
            let ((i, j), v) = quadratic[k];
            if i >= n || j >= n {
                return Err(ConstructionError::OutOfRange);
            }
            if i < j {
                set_entry(&mut matrix, i, j, v);
            } else {
                set_entry(&mut matrix, j, i, v);
            }
            k += 1;
        }
        QUBO::from_matrix(matrix)
    }

    /// Number of variables.
    pub fn num_vars(&self) -> (r: usize)
        ensures
            r == self.spec_num_vars(),
    {
        self.num_vars
    }

    /// The coefficient matrix.
    pub fn matrix(&self) -> (r: &[Vec<i64>])
        ensures
            r@ == self.spec_matrix(),
    {
        self.matrix.as_slice()
    }

    /// Entry `(i, j)`, if it exists.
    pub fn get(&self, i: usize, j: usize) -> (r: Option<&i64>)
        ensures
            (i < self.spec_matrix().len() && j < self.spec_matrix()[i as int]@.len()) ==> r == Some(&self.spec_matrix()[i as int]@[j as int]),
            !(i < self.spec_matrix().len() && j < self.spec_matrix()[i as int]@.len()) ==> r is None,
    {
        if i < self.matrix.len() && j < self.matrix[i].len() {
            Some(&self.matrix[i][j])
        } else {
            None
        }
    }

    /// Evaluates a 0/1 vector: an error on a length mismatch or overflow,
    /// else the objective.
    pub fn evaluate(&self, solution: &Vec<bool>) -> (r: Result<Min<i64>, EvaluationError>)
        requires
            self.wf(),
        ensures
            solution@.len() != self.spec_num_vars() ==> r == Err::<Min<i64>, EvaluationError>(EvaluationError::InvalidConfiguration),
            solution@.len() == self.spec_num_vars() ==> r == (match qubo_energy(self.spec_matrix(), solution@) {
                Some(t) => Ok::<Min<i64>, EvaluationError>(Min(Some(t as i64))),
                None => Err(EvaluationError::IntegerOverflow),
            }),
    {
        let n = self.num_vars;
        if solution.len() != n {
            return Err(EvaluationError::InvalidConfiguration);
        }
        let ghost m = self.matrix@;
        let ghost x = solution@;
        let mut value: i64 = 0;
        let mut i: usize = 0;
        while i < n
            invariant
                self.wf(),
                m == self.matrix@,
                x == solution@,
                n == m.len(),
                x.len() == n,
                i <= n,
                checked_fold(all_terms(m, x, i as int, n as int), i64::MIN as int, i64::MAX as int) == Some(value as int),
            decreases n - i,
        {
            let ghost before = all_terms(m, x, i as int, n as int);
            let mut j: usize = i;
            while j < n
                invariant
                    self.wf(),
                    m == self.matrix@,
                    x == solution@,
                    n == m.len(),
                    x.len() == n,
                    i < n,
                    i <= j <= n,
                    before == all_terms(m, x, i as int, n as int),
                    checked_fold(before + row_terms(m, x, i as int, j as int), i64::MIN as int, i64::MAX as int) == Some(value as int),
                decreases n - j,
            {
                let ghost prefix = before + row_terms(m, x, i as int, j as int);
                assert(before + row_terms(m, x, i as int, j as int + 1) == if x[i as int] && x[j as int] {
                    prefix.push(m[i as int]@[j as int] as int)
                } else {
                    prefix
                }) by {
                    if x[i as int] && x[j as int] {
                        assert(before + row_terms(m, x, i as int, j as int).push(m[i as int]@[j as int] as int)
                            =~= prefix.push(m[i as int]@[j as int] as int));
                    }
                }
                if solution[i] && solution[j] {
                    let w = self.matrix[i][j];
                    proof {
                        lemma_fold_push(prefix, w as int, i64::MIN as int, i64::MAX as int);
                    }
                    if (w >= 0 && value > i64::MAX - w) || (w < 0 && value < i64::MIN - w) {
                        proof {
                            lemma_fold_none_extends(m, x, i as int, j as int + 1, n as int);
                        }
                        return Err(EvaluationError::IntegerOverflow);
                    }
                    value = value + w;
                }
                j += 1;
            }
            assert(all_terms(m, x, i as int + 1, n as int) == before + row_terms(m, x, i as int, n as int));
            i += 1;
        }
        Ok(Min(Some(value)))
    }
}

/// If the terms up to row `i`, column `j` overflow, so does the whole sum.
proof fn lemma_fold_none_extends(m: Seq<Vec<i64>>, x: Seq<bool>, i: int, j: int, n: int)
    requires
        0 <= i < n,
        i <= j <= n,
        n == m.len(),
        x.len() == n,
        square(m),
        checked_fold(all_terms(m, x, i, n) + row_terms(m, x, i, j), i64::MIN as int, i64::MAX as int) is None,
    ensures
        checked_fold(all_terms(m, x, n, n), i64::MIN as int, i64::MAX as int) is None,
    decreases n - i, n - j,
{
    if j < n {
        let prefix = all_terms(m, x, i, n) + row_terms(m, x, i, j);
        lemma_fold_push(prefix, m[i]@[j] as int, i64::MIN as int, i64::MAX as int);
        if x[i] && x[j] {
            assert(all_terms(m, x, i, n) + row_terms(m, x, i, j + 1) =~= prefix.push(m[i]@[j] as int));
        } else {
            assert(all_terms(m, x, i, n) + row_terms(m, x, i, j + 1) =~= prefix);
        }
        lemma_fold_none_extends(m, x, i, j + 1, n);
    } else {
        assert(all_terms(m, x, i + 1, n) == all_terms(m, x, i, n) + row_terms(m, x, i, n));
        if i + 1 < n {
            assert(all_terms(m, x, i + 1, n) + row_terms(m, x, i + 1, i + 1) =~= all_terms(m, x, i + 1, n));
            lemma_fold_none_extends(m, x, i + 1, i + 1, n);
        }
    }
}

/// The terms of a row only read the row from its diagonal on.
proof fn lemma_row_terms_upper(m: Seq<Vec<i64>>, m2: Seq<Vec<i64>>, x: Seq<bool>, i: int, k: int)
    requires
        forall|j: int| i <= j < k ==> (#[trigger] m[i]@[j]) == m2[i]@[j],
    ensures
        row_terms(m, x, i, k) == row_terms(m2, x, i, k),
    decreases k - i,
{
    if k > i {
        lemma_row_terms_upper(m, m2, x, i, k - 1);
        assert(m[i]@[k - 1] == m2[i]@[k - 1]);
    }
}

/// Only the upper triangle counts: two matrices of the same size that
/// agree on and above the diagonal give every assignment the same
/// objective, whatever their entries below the diagonal.
pub proof fn law_lower_triangle_ignored(m: Seq<Vec<i64>>, m2: Seq<Vec<i64>>, x: Seq<bool>)
    requires
        m.len() == m2.len(),
        forall|i: int, j: int| 0 <= i <= j < m.len() ==> (#[trigger] m[i]@[j]) == m2[i]@[j],
    ensures
        qubo_energy(m, x) == qubo_energy(m2, x),
{
    let n = m.len() as int;
    assert forall|r: int| 0 <= r <= n implies #[trigger] all_terms(m, x, r, n) == all_terms(m2, x, r, n) by {
        lemma_all_terms_upper(m, m2, x, r, n);
    }
    assert(all_terms(m, x, n, n) == all_terms(m2, x, n, n));
}

proof fn lemma_all_terms_upper(m: Seq<Vec<i64>>, m2: Seq<Vec<i64>>, x: Seq<bool>, r: int, n: int)
    requires
        0 <= r <= n,
        n == m.len(),
        forall|i: int, j: int| 0 <= i <= j < m.len() ==> (#[trigger] m[i]@[j]) == m2[i]@[j],
    ensures
        all_terms(m, x, r, n) == all_terms(m2, x, r, n),
    decreases r,
{
    if r > 0 {
        lemma_all_terms_upper(m, m2, x, r - 1, n);
        assert forall|j: int| r - 1 <= j < n implies (#[trigger] m[r - 1]@[j]) == m2[r - 1]@[j] by {
            assert(m[r - 1]@[j] == m2[r - 1]@[j]);
        }
        lemma_row_terms_upper(m, m2, x, r - 1, n);
    }
}

/// A row contributes nothing when its own variable is unset.
proof fn lemma_row_terms_unset(m: Seq<Vec<i64>>, x: Seq<bool>, i: int, k: int)
    requires
        !x[i],
    ensures
        row_terms(m, x, i, k) == Seq::<int>::empty(),
    decreases k - i,
{
    if k > i {
        lemma_row_terms_unset(m, x, i, k - 1);
    }
}

/// In the row of the only set variable, only the diagonal entry is taken.
proof fn lemma_row_terms_single(m: Seq<Vec<i64>>, x: Seq<bool>, i: int, k: int)
    requires
        0 <= i < k <= x.len(),
        forall|j: int| 0 <= j < x.len() ==> (#[trigger] x[j]) == (j == i),
    ensures
        row_terms(m, x, i, k) == seq![m[i]@[i] as int],
    decreases k - i,
{
    if k - 1 == i {
        assert(row_terms(m, x, i, k - 1) == Seq::<int>::empty());
        assert(x[i]);
    } else {
        lemma_row_terms_single(m, x, i, k - 1);
        assert(!x[k - 1]);
    }
}

proof fn lemma_all_terms_single(m: Seq<Vec<i64>>, x: Seq<bool>, i: int, r: int, n: int)
    requires
        0 <= i < n,
        0 <= r <= n,
        x.len() == n,
        forall|j: int| 0 <= j < x.len() ==> (#[trigger] x[j]) == (j == i),
    ensures
        all_terms(m, x, r, n) == (if r > i { seq![m[i]@[i] as int] } else { Seq::<int>::empty() }),
    decreases r,
{
    if r > 0 {
        lemma_all_terms_single(m, x, i, r - 1, n);
        if r - 1 == i {
            lemma_row_terms_single(m, x, i, n);
            assert(all_terms(m, x, r - 1, n) == Seq::<int>::empty());
            assert(Seq::<int>::empty() + seq![m[i]@[i] as int] =~= seq![m[i]@[i] as int]);
        } else {
            assert(!x[r - 1]);
            lemma_row_terms_unset(m, x, r - 1, n);
            let prev = all_terms(m, x, r - 1, n);
            assert(prev + Seq::<int>::empty() =~= prev);
        }
    }
}

/// Setting one variable alone gives its diagonal coefficient: the
/// objective of the assignment whose only set variable is `i` is
/// `matrix[i][i]`.
pub proof fn law_single_variable_is_diagonal(m: Seq<Vec<i64>>, x: Seq<bool>, i: int)
    requires
        0 <= i < m.len(),
        x.len() == m.len(),
        forall|j: int| 0 <= j < x.len() ==> (#[trigger] x[j]) == (j == i),
    ensures
        qubo_energy(m, x) == Some(m[i]@[i] as int),
{
    let n = m.len() as int;
    lemma_all_terms_single(m, x, i, n, n);
    let v = m[i]@[i] as int;
    lemma_fold_push(Seq::<int>::empty(), v, i64::MIN as int, i64::MAX as int);
    assert(Seq::<int>::empty().push(v) =~= seq![v]);
}

/// Two set variables `i < j` add their diagonal entries and the one entry
/// above the diagonal that joins them: the objective is
/// `matrix[i][i] + matrix[i][j] + matrix[j][j]`, absent when a partial sum
/// in that order leaves `i64`.
pub proof fn law_pair_of_variables(m: Seq<Vec<i64>>, x: Seq<bool>, i: int, j: int)
    requires
        0 <= i < j < m.len(),
        x.len() == m.len(),
        forall|q: int| 0 <= q < x.len() ==> (#[trigger] x[q]) == (q == i || q == j),
    ensures
        ({
            let a = m[i]@[i] as int;
            let b = m[i]@[j] as int;
            let c = m[j]@[j] as int;
            qubo_energy(m, x) == (if i64::MIN <= a + b <= i64::MAX && i64::MIN <= a + b + c <= i64::MAX {
                Some(a + b + c)
            } else {
                None::<int>
            })
        }),
{
    let n = m.len() as int;
    let a = m[i]@[i] as int;
    let b = m[i]@[j] as int;
    let c = m[j]@[j] as int;
    lemma_all_terms_pair(m, x, i, j, n, n);
    let s3 = seq![a, b, c];
    lemma_fold_push(seq![a, b], c, i64::MIN as int, i64::MAX as int);
    lemma_fold_push(seq![a], b, i64::MIN as int, i64::MAX as int);
    lemma_fold_push(Seq::<int>::empty(), a, i64::MIN as int, i64::MAX as int);
    assert(Seq::<int>::empty().push(a) =~= seq![a]);
    assert(seq![a].push(b) =~= seq![a, b]);
    assert(seq![a, b].push(c) =~= s3);
}

/// Row `r` of the pair assignment: for `r == i` the entries at `i` and `j`,
/// for `r == j` the diagonal entry, nothing otherwise.
proof fn lemma_row_terms_pair(m: Seq<Vec<i64>>, x: Seq<bool>, i: int, j: int, r: int, k: int)
    requires
        0 <= i < j < x.len(),
        0 <= r < x.len(),
        r <= k <= x.len(),
        forall|q: int| 0 <= q < x.len() ==> (#[trigger] x[q]) == (q == i || q == j),
    ensures
        row_terms(m, x, r, k) == (if r == i {
            if k > j { seq![m[i]@[i] as int, m[i]@[j] as int] } else if k > i { seq![m[i]@[i] as int] } else { Seq::<int>::empty() }
        } else if r == j {
            if k > j { seq![m[j]@[j] as int] } else { Seq::<int>::empty() }
        } else {
            Seq::<int>::empty()
        }),
    decreases k - r,
{
    if k > r {
        lemma_row_terms_pair(m, x, i, j, r, k - 1);
        let q = k - 1;
        if r == i {
            if q == j {
                assert(seq![m[i]@[i] as int].push(m[i]@[j] as int) =~= seq![m[i]@[i] as int, m[i]@[j] as int]);
            } else if q == i {
                assert(Seq::<int>::empty().push(m[i]@[i] as int) =~= seq![m[i]@[i] as int]);
            } else {
                assert(!x[q]);
            }
        } else if r == j {
            if q == j {
                assert(Seq::<int>::empty().push(m[j]@[j] as int) =~= seq![m[j]@[j] as int]);
            } else {
                assert(!x[q]);
            }
        } else {
            assert(!x[r]);
        }
    }
}

proof fn lemma_all_terms_pair(m: Seq<Vec<i64>>, x: Seq<bool>, i: int, j: int, r: int, n: int)
    requires
        0 <= i < j < n,
        0 <= r <= n,
        x.len() == n,
        forall|q: int| 0 <= q < x.len() ==> (#[trigger] x[q]) == (q == i || q == j),
    ensures
        all_terms(m, x, r, n) == (if r > j {
            seq![m[i]@[i] as int, m[i]@[j] as int, m[j]@[j] as int]
        } else if r > i {
            seq![m[i]@[i] as int, m[i]@[j] as int]
        } else {
            Seq::<int>::empty()
        }),
    decreases r,
{
    if r > 0 {
        lemma_all_terms_pair(m, x, i, j, r - 1, n);
        lemma_row_terms_pair(m, x, i, j, r - 1, n);
        let prev = all_terms(m, x, r - 1, n);
        let row = row_terms(m, x, r - 1, n);
        if r - 1 == i {
            assert(Seq::<int>::empty() + row =~= row);
        } else if r - 1 == j {
            assert(prev + row =~= seq![m[i]@[i] as int, m[i]@[j] as int, m[j]@[j] as int]);
        } else {
            assert(prev + row =~= prev);
        }
    }
}

} // verus!
